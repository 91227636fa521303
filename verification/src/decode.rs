//! Decode entry points.
//!
//! A type that can be decoded offers [`Decode::decode`]: ask the decoder to
//! scan the next logical element and hand the constructed value back. The
//! whole behaviour is pinned by [`Decode::parse`], a specification-level
//! parser over the remaining tokens. [`DecodeSeed`] is the stateful variant:
//! the seed value carries caller-supplied context (such as "only element N
//! matters") into the construction and is consumed exactly once.

use vstd::prelude::*;

use crate::decoder::{
    advanced, parse_bool, parse_i64, parse_str, parse_u32, parse_u64, Decoder,
};
use crate::token::{agrees, DecodeError, ErrKind, Token};
use crate::visitor::{any_err, any_ok, decode_any, I32Visitor};

verus! {

/// A decode entry point: scan the next logical element of the input and
/// construct a `Self`, or fail without handing back any partial value.
pub trait Decode: Sized {
    /// The result and token consumption of decoding a `Self` from the head
    /// of `ts`; the consumption is meaningful on success.
    spec fn parse(ts: Seq<Token>) -> (Result<Self, ErrKind>, int);

    /// Decodes one `Self` from the decoder's current position.
    fn decode(d: &mut Decoder) -> (r: Result<Self, DecodeError>)
        requires
            old(d).wf(),
        ensures
            advanced(*old(d), *final(d)),
            agrees(r, Self::parse(old(d).remaining()).0),
            r is Ok ==> final(d).pos_spec() == old(d).pos_spec() + Self::parse(
                old(d).remaining(),
            ).1,
    ;
}

/// A stateful decode entry point: the seed carries context that cannot live
/// in the target type itself, and is consumed by exactly one decode call.
pub trait DecodeSeed: Sized {
    type Value;

    /// On success over `ts`, this seeded decode produces `v` after
    /// consuming `n` tokens.
    spec fn seed_ok(self, ts: Seq<Token>, v: Self::Value, n: int) -> bool;

    /// On failure over `ts`, the error kind is `k`.
    spec fn seed_err(self, ts: Seq<Token>, k: ErrKind) -> bool;

    /// Decodes one value, consuming the seed.
    fn consume(self, d: &mut Decoder) -> (r: Result<Self::Value, DecodeError>)
        requires
            old(d).wf(),
        ensures
            advanced(*old(d), *final(d)),
            r matches Ok(v) ==> self.seed_ok(
                old(d).remaining(),
                v,
                final(d).pos_spec() - old(d).pos_spec(),
            ),
            r matches Err(e) ==> self.seed_err(old(d).remaining(), e.kind()),
    ;
}

impl Decode for bool {
    open spec fn parse(ts: Seq<Token>) -> (Result<bool, ErrKind>, int) {
        parse_bool(ts)
    }

    fn decode(d: &mut Decoder) -> (r: Result<bool, DecodeError>) {
        d.decode_bool()
    }
}

impl Decode for u64 {
    open spec fn parse(ts: Seq<Token>) -> (Result<u64, ErrKind>, int) {
        parse_u64(ts)
    }

    fn decode(d: &mut Decoder) -> (r: Result<u64, DecodeError>) {
        d.decode_u64()
    }
}

impl Decode for u32 {
    open spec fn parse(ts: Seq<Token>) -> (Result<u32, ErrKind>, int) {
        parse_u32(ts)
    }

    fn decode(d: &mut Decoder) -> (r: Result<u32, DecodeError>) {
        d.decode_u32()
    }
}

impl Decode for i64 {
    open spec fn parse(ts: Seq<Token>) -> (Result<i64, ErrKind>, int) {
        parse_i64(ts)
    }

    fn decode(d: &mut Decoder) -> (r: Result<i64, DecodeError>) {
        d.decode_i64()
    }
}

impl Decode for String {
    open spec fn parse(ts: Seq<Token>) -> (Result<String, ErrKind>, int) {
        parse_str(ts)
    }

    fn decode(d: &mut Decoder) -> (r: Result<String, DecodeError>) {
        d.decode_str()
    }
}

/// What decoding an `i32` yields: an integer scalar widened from any
/// narrower width, with values outside the target's range rejected.
pub open spec fn parse_i32(ts: Seq<Token>) -> (Result<i32, ErrKind>, int) {
    if ts.len() == 0 {
        (Err(ErrKind::Mismatch), 0)
    } else {
        match ts[0] {
            Token::Int(i) => if i32::MIN <= i <= i32::MAX {
                (Ok(i as i32), 1)
            } else {
                (Err(ErrKind::Range(i)), 1)
            },
            _ => (Err(ErrKind::Mismatch), 0),
        }
    }
}

impl Decode for i32 {
    open spec fn parse(ts: Seq<Token>) -> (Result<i32, ErrKind>, int) {
        parse_i32(ts)
    }

    fn decode(d: &mut Decoder) -> (r: Result<i32, DecodeError>) {
        let ghost ts = d.remaining();
        let r = decode_any(d, I32Visitor);
        proof {
            if r is Ok {
                let v = r->Ok_0;
                let n = d.pos_spec() - old(d).pos_spec();
                assert(any_ok(I32Visitor, ts, v, n));
            }
            if r is Err {
                assert(any_err(I32Visitor, ts, r->Err_0.kind()));
            }
        }
        r
    }
}

} // verus!
