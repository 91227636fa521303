//! The visitor: type-specific construction logic, driven by the decoder.
//!
//! The decoder, not the visitor, decides which handler runs: it inspects the
//! shape of the next piece of input and invokes exactly one visitation
//! method ([`decode_any`]). A visitor declares, per shape, what it produces:
//! scalar handlers as specification functions of the scalar, aggregate
//! handlers as relations over the tokens between the aggregate's start and
//! end. Handlers that a visitor does not support report a shape mismatch
//! citing the visitor's "expecting" description.

use vstd::prelude::*;

use crate::decoder::{advanced, head_shape, Decoder};
use crate::token::{agrees, DecodeError, ErrKind, Shape, Token};

verus! {

/// Type-specific construction logic, polymorphic over which shapes it
/// accepts. A visitor is constructed for one decode call and consumed
/// exactly once.
///
/// The aggregate handlers receive the decoder positioned just after the
/// opening token of the aggregate; on success they leave it just after the
/// matching closing token, having consumed `n` tokens in between (the
/// closing token included), as their `seq_ok`/`map_ok` relation states.
pub trait Visitor: Sized {
    type Value;

    /// What this visitor produces from a boolean scalar.
    spec fn bool_spec(self, b: bool) -> Result<Self::Value, ErrKind>;

    /// What this visitor produces from an integer scalar.
    spec fn int_spec(self, i: i128) -> Result<Self::Value, ErrKind>;

    /// What this visitor produces from a string scalar.
    spec fn str_spec(self, s: String) -> Result<Self::Value, ErrKind>;

    /// What this visitor produces from a unit scalar.
    spec fn unit_spec(self) -> Result<Self::Value, ErrKind>;

    /// On success over a sequence body `ts`, the result is `v` after
    /// consuming `n` tokens of `ts` (the closing token included).
    spec fn seq_ok(self, ts: Seq<Token>, v: Self::Value, n: int) -> bool;

    /// On failure over a sequence body `ts`, the error kind is `k`.
    spec fn seq_err(self, ts: Seq<Token>, k: ErrKind) -> bool;

    /// On success over a map body `ts`, the result is `v` after consuming
    /// `n` tokens of `ts` (the closing token included).
    spec fn map_ok(self, ts: Seq<Token>, v: Self::Value, n: int) -> bool;

    /// On failure over a map body `ts`, the error kind is `k`.
    spec fn map_err(self, ts: Seq<Token>, k: ErrKind) -> bool;

    /// The description of what this visitor accepts, as a character
    /// sequence, so error reports can be pinned to it.
    spec fn expecting_spec(self) -> Seq<char>;

    /// A human-readable description of what this visitor accepts, used in
    /// shape-mismatch reports.
    fn expecting(&self) -> (r: String)
        ensures
            r@ == self.expecting_spec(),
    ;

    /// Handles a boolean scalar.
    fn visit_bool(self, b: bool) -> (r: Result<Self::Value, DecodeError>)
        ensures
            agrees(r, self.bool_spec(b)),
    ;

    /// Handles an integer scalar.
    fn visit_int(self, i: i128) -> (r: Result<Self::Value, DecodeError>)
        ensures
            agrees(r, self.int_spec(i)),
    ;

    /// Handles a string scalar.
    fn visit_str(self, s: String) -> (r: Result<Self::Value, DecodeError>)
        ensures
            agrees(r, self.str_spec(s)),
    ;

    /// Handles a unit scalar.
    fn visit_unit(self) -> (r: Result<Self::Value, DecodeError>)
        ensures
            agrees(r, self.unit_spec()),
    ;

    /// Handles a sequence; the decoder stands just after the opening token.
    fn visit_seq(self, d: &mut Decoder) -> (r: Result<Self::Value, DecodeError>)
        requires
            old(d).wf(),
        ensures
            advanced(*old(d), *final(d)),
            r matches Ok(v) ==> self.seq_ok(
                old(d).remaining(),
                v,
                final(d).pos_spec() - old(d).pos_spec(),
            ),
            r matches Err(e) ==> self.seq_err(old(d).remaining(), e.kind()),
    ;

    /// Handles a map; the decoder stands just after the opening token.
    fn visit_map(self, d: &mut Decoder) -> (r: Result<Self::Value, DecodeError>)
        requires
            old(d).wf(),
        ensures
            advanced(*old(d), *final(d)),
            r matches Ok(v) ==> self.map_ok(
                old(d).remaining(),
                v,
                final(d).pos_spec() - old(d).pos_spec(),
            ),
            r matches Err(e) ==> self.map_err(old(d).remaining(), e.kind()),
    ;
}

/// What dispatching a visitor over the head of `ts` produces on success:
/// the value `v` after consuming `n` tokens.
pub open spec fn any_ok<V: Visitor>(vis: V, ts: Seq<Token>, v: V::Value, n: int) -> bool {
    if ts.len() == 0 {
        false
    } else {
        match ts[0] {
            Token::Bool(b) => vis.bool_spec(b) == Ok::<V::Value, ErrKind>(v) && n == 1,
            Token::Int(i) => vis.int_spec(i) == Ok::<V::Value, ErrKind>(v) && n == 1,
            Token::Str(s) => vis.str_spec(s) == Ok::<V::Value, ErrKind>(v) && n == 1,
            Token::Unit => vis.unit_spec() == Ok::<V::Value, ErrKind>(v) && n == 1,
            Token::SeqStart => vis.seq_ok(ts.skip(1), v, n - 1),
            Token::MapStart => vis.map_ok(ts.skip(1), v, n - 1),
            Token::SeqEnd => false,
            Token::MapEnd => false,
        }
    }
}

/// What dispatching a visitor over the head of `ts` reports on failure.
pub open spec fn any_err<V: Visitor>(vis: V, ts: Seq<Token>, k: ErrKind) -> bool {
    if ts.len() == 0 {
        k == ErrKind::Mismatch
    } else {
        match ts[0] {
            Token::Bool(b) => vis.bool_spec(b) == Err::<V::Value, ErrKind>(k),
            Token::Int(i) => vis.int_spec(i) == Err::<V::Value, ErrKind>(k),
            Token::Str(s) => vis.str_spec(s) == Err::<V::Value, ErrKind>(k),
            Token::Unit => vis.unit_spec() == Err::<V::Value, ErrKind>(k),
            Token::SeqStart => vis.seq_err(ts.skip(1), k),
            Token::MapStart => vis.map_err(ts.skip(1), k),
            Token::SeqEnd => k == ErrKind::Mismatch,
            Token::MapEnd => k == ErrKind::Mismatch,
        }
    }
}

/// The core dispatch: inspect the shape of the next piece of input and run
/// exactly one handler of the visitor, or fail with a shape mismatch
/// without running any handler.
pub fn decode_any<V: Visitor>(d: &mut Decoder, vis: V) -> (r: Result<V::Value, DecodeError>)
    requires
        old(d).wf(),
    ensures
        advanced(*old(d), *final(d)),
        r matches Ok(v) ==> any_ok(vis, old(d).remaining(), v, final(d).pos_spec() - old(
            d,
        ).pos_spec()),
        r matches Err(e) ==> any_err(vis, old(d).remaining(), e.kind()),
        (head_shape(old(d).remaining()) is SeqClose || head_shape(old(d).remaining()) is MapClose
            || head_shape(old(d).remaining()) is Eof) ==> (r matches Err(e) ==> (e matches
        DecodeError::ShapeMismatch { expected, found } && expected@ == vis.expecting_spec()
            && found == head_shape(old(d).remaining()))),
{
    let ghost ts = d.remaining();
    let s = d.peek_shape();
    match s {
        Shape::Bool => match d.decode_bool() {
            Ok(b) => vis.visit_bool(b),
            Err(e) => Err(e),
        },
        Shape::Integer => match d.decode_int() {
            Ok(i) => vis.visit_int(i),
            Err(e) => Err(e),
        },
        Shape::Text => match d.decode_str() {
            Ok(t) => vis.visit_str(t),
            Err(e) => Err(e),
        },
        Shape::Unit => match d.decode_unit() {
            Ok(()) => vis.visit_unit(),
            Err(e) => Err(e),
        },
        Shape::Sequence => {
            d.advance();
            proof {
                assert(d.remaining() =~= ts.skip(1));
            }
            vis.visit_seq(d)
        },
        Shape::Mapping => {
            d.advance();
            proof {
                assert(d.remaining() =~= ts.skip(1));
            }
            vis.visit_map(d)
        },
        Shape::SeqClose | Shape::MapClose | Shape::Eof => Err(DecodeError::ShapeMismatch {
            expected: vis.expecting(),
            found: s,
        }),
    }
}

/// A visitor able to build a 32-bit signed integer from any integer input
/// that fits: narrower values widen, values outside the target's range are
/// rejected with a range error citing the value.
pub struct I32Visitor;

impl Visitor for I32Visitor {
    type Value = i32;

    open spec fn bool_spec(self, b: bool) -> Result<i32, ErrKind> {
        Err(ErrKind::Mismatch)
    }

    open spec fn int_spec(self, i: i128) -> Result<i32, ErrKind> {
        if i32::MIN <= i <= i32::MAX {
            Ok(i as i32)
        } else {
            Err(ErrKind::Range(i))
        }
    }

    open spec fn str_spec(self, s: String) -> Result<i32, ErrKind> {
        Err(ErrKind::Mismatch)
    }

    open spec fn unit_spec(self) -> Result<i32, ErrKind> {
        Err(ErrKind::Mismatch)
    }

    open spec fn seq_ok(self, ts: Seq<Token>, v: i32, n: int) -> bool {
        false
    }

    open spec fn seq_err(self, ts: Seq<Token>, k: ErrKind) -> bool {
        k == ErrKind::Mismatch
    }

    open spec fn map_ok(self, ts: Seq<Token>, v: i32, n: int) -> bool {
        false
    }

    open spec fn map_err(self, ts: Seq<Token>, k: ErrKind) -> bool {
        k == ErrKind::Mismatch
    }

    open spec fn expecting_spec(self) -> Seq<char> {
        "a 32-bit signed integer"@
    }

    fn expecting(&self) -> (r: String) {
        "a 32-bit signed integer".to_owned()
    }

    fn visit_bool(self, b: bool) -> (r: Result<i32, DecodeError>) {
        Err(DecodeError::ShapeMismatch { expected: self.expecting(), found: Shape::Bool })
    }

    fn visit_int(self, i: i128) -> (r: Result<i32, DecodeError>) {
        if i32::MIN as i128 <= i && i <= i32::MAX as i128 {
            Ok(i as i32)
        } else {
            Err(DecodeError::RangeError { value: i })
        }
    }

    fn visit_str(self, s: String) -> (r: Result<i32, DecodeError>) {
        Err(DecodeError::ShapeMismatch { expected: self.expecting(), found: Shape::Text })
    }

    fn visit_unit(self) -> (r: Result<i32, DecodeError>) {
        Err(DecodeError::ShapeMismatch { expected: self.expecting(), found: Shape::Unit })
    }

    fn visit_seq(self, d: &mut Decoder) -> (r: Result<i32, DecodeError>) {
        Err(DecodeError::ShapeMismatch { expected: self.expecting(), found: Shape::Sequence })
    }

    fn visit_map(self, d: &mut Decoder) -> (r: Result<i32, DecodeError>) {
        Err(DecodeError::ShapeMismatch { expected: self.expecting(), found: Shape::Mapping })
    }
}

} // verus!
