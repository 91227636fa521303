//! The decoder: a single-pass cursor over a token stream.
//!
//! The decoder owns the input tokens and a position. It lazily yields one
//! token at a time and never materializes an aggregate; aggregate decoding is
//! a loop of scalar steps between a start and an end token. Each primitive
//! states exactly which token it consumes and what it returns, in terms of a
//! small specification-level parser over the remaining tokens.

use vstd::prelude::*;

use crate::token::{agrees, copy_token, shape_of, token_shape, DecodeError, ErrKind, Shape, Token};

verus! {

/// A cursor over a token stream. Positions only move forward during a
/// decode; `mark`/`rewind` give explicit backtracking for the decoders that
/// need to try alternatives (the untagged layout) or re-read a buffered
/// region (either-order adjacent tags).
pub struct Decoder {
    tokens: Vec<Token>,
    pos: usize,
}

/// The decoders below relate the cursor before and after a call: the tokens
/// are never changed, and the position only moves forward. On success each
/// contract states the exact consumption; on failure the position is
/// deliberately left unspecified beyond this, since the protocol is
/// fail-fast -- a failed decode is abandoned whole and no partial value or
/// resumption point is offered to the caller.
pub open spec fn advanced(pre: Decoder, post: Decoder) -> bool {
    &&& post.toks() == pre.toks()
    &&& pre.pos_spec() <= post.pos_spec() <= post.toks().len()
}

/// The shape of the head of a token sequence, `Eof` if it is empty.
pub open spec fn head_shape(ts: Seq<Token>) -> Shape {
    if ts.len() == 0 {
        Shape::Eof
    } else {
        shape_of(ts[0])
    }
}

/// Parses one boolean token.
pub open spec fn parse_bool(ts: Seq<Token>) -> (Result<bool, ErrKind>, int) {
    if ts.len() == 0 {
        (Err(ErrKind::Mismatch), 0)
    } else {
        match ts[0] {
            Token::Bool(b) => (Ok(b), 1),
            _ => (Err(ErrKind::Mismatch), 0),
        }
    }
}

/// Parses one integer token at full width.
pub open spec fn parse_int(ts: Seq<Token>) -> (Result<i128, ErrKind>, int) {
    if ts.len() == 0 {
        (Err(ErrKind::Mismatch), 0)
    } else {
        match ts[0] {
            Token::Int(i) => (Ok(i), 1),
            _ => (Err(ErrKind::Mismatch), 0),
        }
    }
}

/// Parses one integer token as a `u64`, rejecting values outside the
/// target's range with a range error that cites the value.
pub open spec fn parse_u64(ts: Seq<Token>) -> (Result<u64, ErrKind>, int) {
    if ts.len() == 0 {
        (Err(ErrKind::Mismatch), 0)
    } else {
        match ts[0] {
            Token::Int(i) => if 0 <= i <= u64::MAX {
                (Ok(i as u64), 1)
            } else {
                (Err(ErrKind::Range(i)), 1)
            },
            _ => (Err(ErrKind::Mismatch), 0),
        }
    }
}

/// Parses one integer token as a `u32`.
pub open spec fn parse_u32(ts: Seq<Token>) -> (Result<u32, ErrKind>, int) {
    if ts.len() == 0 {
        (Err(ErrKind::Mismatch), 0)
    } else {
        match ts[0] {
            Token::Int(i) => if 0 <= i <= u32::MAX {
                (Ok(i as u32), 1)
            } else {
                (Err(ErrKind::Range(i)), 1)
            },
            _ => (Err(ErrKind::Mismatch), 0),
        }
    }
}

/// Parses one integer token as an `i64`.
pub open spec fn parse_i64(ts: Seq<Token>) -> (Result<i64, ErrKind>, int) {
    if ts.len() == 0 {
        (Err(ErrKind::Mismatch), 0)
    } else {
        match ts[0] {
            Token::Int(i) => if i64::MIN <= i <= i64::MAX {
                (Ok(i as i64), 1)
            } else {
                (Err(ErrKind::Range(i)), 1)
            },
            _ => (Err(ErrKind::Mismatch), 0),
        }
    }
}

/// Parses one string token; the identifier decode uses the same parser.
pub open spec fn parse_str(ts: Seq<Token>) -> (Result<String, ErrKind>, int) {
    if ts.len() == 0 {
        (Err(ErrKind::Mismatch), 0)
    } else {
        match ts[0] {
            Token::Str(s) => (Ok(s), 1),
            _ => (Err(ErrKind::Mismatch), 0),
        }
    }
}

/// Parses one unit token.
pub open spec fn parse_unit(ts: Seq<Token>) -> (Result<(), ErrKind>, int) {
    if ts.len() == 0 {
        (Err(ErrKind::Mismatch), 0)
    } else {
        match ts[0] {
            Token::Unit => (Ok(()), 1),
            _ => (Err(ErrKind::Mismatch), 0),
        }
    }
}

impl Decoder {
    /// The whole input.
    pub closed spec fn toks(self) -> Seq<Token> {
        self.tokens@
    }

    /// The cursor position.
    pub closed spec fn pos_spec(self) -> int {
        self.pos as int
    }

    /// The cursor never points past the end of the input.
    pub open spec fn wf(self) -> bool {
        0 <= self.pos_spec() <= self.toks().len()
    }

    /// The tokens not yet consumed.
    pub open spec fn remaining(self) -> Seq<Token> {
        self.toks().skip(self.pos_spec())
    }

    /// A decoder positioned at the start of the given tokens.
    pub fn new(tokens: Vec<Token>) -> (d: Decoder)
        ensures
            d.wf(),
            d.toks() == tokens@,
            d.pos_spec() == 0,
            d.remaining() == tokens@,
    {
        let d = Decoder { tokens, pos: 0 };
        proof {
            assert(d.remaining() =~= d.toks());
        }
        d
    }

    /// The shape of the next piece of input, without consuming anything.
    pub fn peek_shape(&self) -> (s: Shape)
        requires
            self.wf(),
        ensures
            s == head_shape(self.remaining()),
    {
        if self.pos < self.tokens.len() {
            let s = token_shape(&self.tokens[self.pos]);
            proof {
                assert(self.remaining()[0] == self.toks()[self.pos_spec()]);
            }
            s
        } else {
            Shape::Eof
        }
    }

    /// True at the end of the whole input.
    pub fn at_eof(&self) -> (b: bool)
        requires
            self.wf(),
        ensures
            b == (self.remaining().len() == 0),
    {
        self.pos == self.tokens.len()
    }

    /// Consumes one token, whatever it is.
    pub fn advance(&mut self)
        requires
            old(self).wf(),
            old(self).remaining().len() > 0,
        ensures
            final(self).toks() == old(self).toks(),
            final(self).pos_spec() == old(self).pos_spec() + 1,
            final(self).wf(),
    {
        if self.pos < self.tokens.len() {
            self.pos = self.pos + 1;
        } else {
            proof {
                assert(false);
            }
        }
    }

    /// The current position, for a later `rewind`.
    pub fn mark(&self) -> (p: usize)
        ensures
            p as int == self.pos_spec(),
    {
        self.pos
    }

    /// Moves the cursor back to a previously marked position.
    pub fn rewind(&mut self, p: usize)
        requires
            old(self).wf(),
            p as int <= old(self).toks().len(),
        ensures
            final(self).toks() == old(self).toks(),
            final(self).pos_spec() == p as int,
            final(self).wf(),
    {
        self.pos = p;
    }

    /// Copies the tokens of the half-open range `[a, b)` of the input.
    /// Buffering a region this way is only needed for map splicing, where
    /// leftover entries must be held until every key has been seen.
    pub fn excerpt(&self, a: usize, b: usize) -> (v: Vec<Token>)
        requires
            a <= b,
            b as int <= self.toks().len(),
        ensures
            v@ == self.toks().subrange(a as int, b as int),
    {
        let mut v: Vec<Token> = Vec::new();
        let mut i: usize = a;
        while i < b
            invariant
                a <= i <= b,
                b <= self.tokens.len(),
                self.toks() == self.tokens@,
                v@ == self.toks().subrange(a as int, i as int),
            decreases b - i,
        {
            v.push(copy_token(&self.tokens[i]));
            i = i + 1;
            proof {
                assert(v@ =~= self.toks().subrange(a as int, i as int));
            }
        }
        v
    }

    /// Decodes a boolean scalar.
    pub fn decode_bool(&mut self) -> (r: Result<bool, DecodeError>)
        requires
            old(self).wf(),
        ensures
            advanced(*old(self), *final(self)),
            agrees(r, parse_bool(old(self).remaining()).0),
            final(self).pos_spec() == old(self).pos_spec() + parse_bool(old(self).remaining()).1,
            r matches Err(e) ==> (e matches DecodeError::ShapeMismatch { found, .. }
                ==> found == head_shape(old(self).remaining())),
    {
        proof {
            if self.pos < self.tokens.len() {
                assert(self.remaining()[0] == self.toks()[self.pos_spec()]);
            }
        }
        if self.pos < self.tokens.len() {
            match &self.tokens[self.pos] {
                Token::Bool(b) => {
                    let v = *b;
                    self.pos = self.pos + 1;
                    Ok(v)
                },
                t => Err(DecodeError::ShapeMismatch {
                    expected: "a boolean".to_owned(),
                    found: token_shape(t),
                }),
            }
        } else {
            Err(DecodeError::ShapeMismatch { expected: "a boolean".to_owned(), found: Shape::Eof })
        }
    }

    /// Decodes an integer scalar at full width.
    pub fn decode_int(&mut self) -> (r: Result<i128, DecodeError>)
        requires
            old(self).wf(),
        ensures
            advanced(*old(self), *final(self)),
            agrees(r, parse_int(old(self).remaining()).0),
            final(self).pos_spec() == old(self).pos_spec() + parse_int(old(self).remaining()).1,
            r matches Err(e) ==> (e matches DecodeError::ShapeMismatch { found, .. }
                ==> found == head_shape(old(self).remaining())),
    {
        proof {
            if self.pos < self.tokens.len() {
                assert(self.remaining()[0] == self.toks()[self.pos_spec()]);
            }
        }
        if self.pos < self.tokens.len() {
            match &self.tokens[self.pos] {
                Token::Int(i) => {
                    let v = *i;
                    self.pos = self.pos + 1;
                    Ok(v)
                },
                t => Err(DecodeError::ShapeMismatch {
                    expected: "an integer".to_owned(),
                    found: token_shape(t),
                }),
            }
        } else {
            Err(DecodeError::ShapeMismatch { expected: "an integer".to_owned(), found: Shape::Eof })
        }
    }

    /// Decodes an integer scalar into a `u64`, widening from any narrower
    /// input and rejecting values outside the target range.
    pub fn decode_u64(&mut self) -> (r: Result<u64, DecodeError>)
        requires
            old(self).wf(),
        ensures
            advanced(*old(self), *final(self)),
            agrees(r, parse_u64(old(self).remaining()).0),
            final(self).pos_spec() == old(self).pos_spec() + parse_u64(old(self).remaining()).1,
            r matches Err(e) ==> (e matches DecodeError::ShapeMismatch { found, .. }
                ==> found == head_shape(old(self).remaining())),
    {
        proof {
            if self.pos < self.tokens.len() {
                assert(self.remaining()[0] == self.toks()[self.pos_spec()]);
            }
        }
        if self.pos < self.tokens.len() {
            match &self.tokens[self.pos] {
                Token::Int(i) => {
                    let v = *i;
                    self.pos = self.pos + 1;
                    if 0 <= v && v <= u64::MAX as i128 {
                        Ok(v as u64)
                    } else {
                        Err(DecodeError::RangeError { value: v })
                    }
                },
                t => Err(DecodeError::ShapeMismatch {
                    expected: "an unsigned 64-bit integer".to_owned(),
                    found: token_shape(t),
                }),
            }
        } else {
            Err(DecodeError::ShapeMismatch {
                expected: "an unsigned 64-bit integer".to_owned(),
                found: Shape::Eof,
            })
        }
    }

    /// Decodes an integer scalar into a `u32`.
    pub fn decode_u32(&mut self) -> (r: Result<u32, DecodeError>)
        requires
            old(self).wf(),
        ensures
            advanced(*old(self), *final(self)),
            agrees(r, parse_u32(old(self).remaining()).0),
            final(self).pos_spec() == old(self).pos_spec() + parse_u32(old(self).remaining()).1,
            r matches Err(e) ==> (e matches DecodeError::ShapeMismatch { found, .. }
                ==> found == head_shape(old(self).remaining())),
    {
        proof {
            if self.pos < self.tokens.len() {
                assert(self.remaining()[0] == self.toks()[self.pos_spec()]);
            }
        }
        if self.pos < self.tokens.len() {
            match &self.tokens[self.pos] {
                Token::Int(i) => {
                    let v = *i;
                    self.pos = self.pos + 1;
                    if 0 <= v && v <= u32::MAX as i128 {
                        Ok(v as u32)
                    } else {
                        Err(DecodeError::RangeError { value: v })
                    }
                },
                t => Err(DecodeError::ShapeMismatch {
                    expected: "an unsigned 32-bit integer".to_owned(),
                    found: token_shape(t),
                }),
            }
        } else {
            Err(DecodeError::ShapeMismatch {
                expected: "an unsigned 32-bit integer".to_owned(),
                found: Shape::Eof,
            })
        }
    }

    /// Decodes an integer scalar into an `i64`.
    pub fn decode_i64(&mut self) -> (r: Result<i64, DecodeError>)
        requires
            old(self).wf(),
        ensures
            advanced(*old(self), *final(self)),
            agrees(r, parse_i64(old(self).remaining()).0),
            final(self).pos_spec() == old(self).pos_spec() + parse_i64(old(self).remaining()).1,
            r matches Err(e) ==> (e matches DecodeError::ShapeMismatch { found, .. }
                ==> found == head_shape(old(self).remaining())),
    {
        proof {
            if self.pos < self.tokens.len() {
                assert(self.remaining()[0] == self.toks()[self.pos_spec()]);
            }
        }
        if self.pos < self.tokens.len() {
            match &self.tokens[self.pos] {
                Token::Int(i) => {
                    let v = *i;
                    self.pos = self.pos + 1;
                    if i64::MIN as i128 <= v && v <= i64::MAX as i128 {
                        Ok(v as i64)
                    } else {
                        Err(DecodeError::RangeError { value: v })
                    }
                },
                t => Err(DecodeError::ShapeMismatch {
                    expected: "a signed 64-bit integer".to_owned(),
                    found: token_shape(t),
                }),
            }
        } else {
            Err(DecodeError::ShapeMismatch {
                expected: "a signed 64-bit integer".to_owned(),
                found: Shape::Eof,
            })
        }
    }

    /// Decodes a string scalar.
    pub fn decode_str(&mut self) -> (r: Result<String, DecodeError>)
        requires
            old(self).wf(),
        ensures
            advanced(*old(self), *final(self)),
            agrees(r, parse_str(old(self).remaining()).0),
            final(self).pos_spec() == old(self).pos_spec() + parse_str(old(self).remaining()).1,
            r matches Err(e) ==> (e matches DecodeError::ShapeMismatch { found, .. }
                ==> found == head_shape(old(self).remaining())),
    {
        proof {
            if self.pos < self.tokens.len() {
                assert(self.remaining()[0] == self.toks()[self.pos_spec()]);
            }
        }
        if self.pos < self.tokens.len() {
            match &self.tokens[self.pos] {
                Token::Str(s) => {
                    let v = s.clone();
                    self.pos = self.pos + 1;
                    Ok(v)
                },
                t => Err(DecodeError::ShapeMismatch {
                    expected: "a string".to_owned(),
                    found: token_shape(t),
                }),
            }
        } else {
            Err(DecodeError::ShapeMismatch { expected: "a string".to_owned(), found: Shape::Eof })
        }
    }

    /// Decodes a field or variant identifier. Identifiers travel as string
    /// tokens; this differs from `decode_str` only in the error report.
    pub fn decode_identifier(&mut self) -> (r: Result<String, DecodeError>)
        requires
            old(self).wf(),
        ensures
            advanced(*old(self), *final(self)),
            agrees(r, parse_str(old(self).remaining()).0),
            final(self).pos_spec() == old(self).pos_spec() + parse_str(old(self).remaining()).1,
            r matches Err(e) ==> (e matches DecodeError::ShapeMismatch { found, .. }
                ==> found == head_shape(old(self).remaining())),
    {
        proof {
            if self.pos < self.tokens.len() {
                assert(self.remaining()[0] == self.toks()[self.pos_spec()]);
            }
        }
        if self.pos < self.tokens.len() {
            match &self.tokens[self.pos] {
                Token::Str(s) => {
                    let v = s.clone();
                    self.pos = self.pos + 1;
                    Ok(v)
                },
                t => Err(DecodeError::ShapeMismatch {
                    expected: "an identifier".to_owned(),
                    found: token_shape(t),
                }),
            }
        } else {
            Err(DecodeError::ShapeMismatch {
                expected: "an identifier".to_owned(),
                found: Shape::Eof,
            })
        }
    }

    /// Decodes a unit scalar.
    pub fn decode_unit(&mut self) -> (r: Result<(), DecodeError>)
        requires
            old(self).wf(),
        ensures
            advanced(*old(self), *final(self)),
            agrees(r, parse_unit(old(self).remaining()).0),
            final(self).pos_spec() == old(self).pos_spec() + parse_unit(old(self).remaining()).1,
            r matches Err(e) ==> (e matches DecodeError::ShapeMismatch { found, .. }
                ==> found == head_shape(old(self).remaining())),
    {
        proof {
            if self.pos < self.tokens.len() {
                assert(self.remaining()[0] == self.toks()[self.pos_spec()]);
            }
        }
        if self.pos < self.tokens.len() {
            match &self.tokens[self.pos] {
                Token::Unit => {
                    self.pos = self.pos + 1;
                    Ok(())
                },
                t => Err(DecodeError::ShapeMismatch {
                    expected: "a unit".to_owned(),
                    found: token_shape(t),
                }),
            }
        } else {
            Err(DecodeError::ShapeMismatch { expected: "a unit".to_owned(), found: Shape::Eof })
        }
    }
}

} // verus!
