//! Seeded decode: pick the Nth element of a sequence, discard the rest.
//!
//! `NthElement` carries caller context -- the wanted index -- that cannot
//! live in the element type itself. It skips the elements before the index
//! with the discard path, decodes the wanted element, then drains the rest
//! of the sequence so the cursor ends just past the closing token. Too short
//! an input fails with an invalid length citing how many elements were
//! actually seen; as everywhere in this crate, the cursor position after a
//! failure is deliberately unspecified (the elements are in fact consumed
//! before the failure is reported, but a failed decode is abandoned whole,
//! so no contract rests on that).

use core::marker::PhantomData;
use vstd::prelude::*;

use crate::decode::{Decode, DecodeSeed};
use crate::decoder::{advanced, Decoder};
use crate::discard::{
    lemma_skip_len_bounds, skip_items, skip_len, skip_run, skip_value,
};
use crate::token::{agrees, DecodeError, ErrKind, Shape, Token};
use crate::visitor::{any_err, any_ok, decode_any, Visitor};

verus! {

/// The parser for "element `n - k` of the `k`-more-to-skip tail": skip `k`
/// whole elements, decode one `T`, then drain up to and past the close.
pub open spec fn nth_rec<T: Decode>(ts: Seq<Token>, k: int, n: int) -> (Result<T, ErrKind>, int)
    decreases ts.len(),
{
    if ts.len() == 0 {
        (Err(ErrKind::Mismatch), 0)
    } else if ts[0] is SeqEnd {
        (Err(ErrKind::BadLength((n - k) as usize)), 0)
    } else if k == 0 {
        let (r, m) = T::parse(ts);
        match r {
            Err(e) => (Err(e), 0),
            Ok(v) => if 0 <= m <= ts.len() {
                match skip_items(ts.skip(m), false) {
                    Some(dn) => (Ok(v), m + dn),
                    None => (Err(ErrKind::Mismatch), 0),
                }
            } else {
                (Err(ErrKind::Mismatch), 0)
            },
        }
    } else {
        match skip_len(ts) {
            None => (Err(ErrKind::Mismatch), 0),
            Some(sn) => if 1 <= sn <= ts.len() {
                let t = nth_rec::<T>(ts.skip(sn), k - 1, n);
                (t.0, sn + t.1)
            } else {
                (Err(ErrKind::Mismatch), 0)
            },
        }
    }
}

/// Skips `k` elements, decodes one `T`, drains the rest of the sequence.
fn nth_go<T: Decode>(d: &mut Decoder, k: usize, n: usize) -> (r: Result<T, DecodeError>)
    requires
        old(d).wf(),
        k <= n,
    ensures
        advanced(*old(d), *final(d)),
        agrees(r, nth_rec::<T>(old(d).remaining(), k as int, n as int).0),
        r is Ok ==> final(d).pos_spec() == old(d).pos_spec() + nth_rec::<T>(
            old(d).remaining(),
            k as int,
            n as int,
        ).1,
    decreases old(d).toks().len() - old(d).pos_spec(),
{
    let ghost ts = d.remaining();
    let s = d.peek_shape();
    if matches!(s, Shape::SeqClose) {
        return Err(DecodeError::InvalidLength { index: n - k });
    }
    if matches!(s, Shape::Eof) {
        return Err(DecodeError::ShapeMismatch {
            expected: "a sequence element".to_owned(),
            found: Shape::Eof,
        });
    }
    if k == 0 {
        let v = match T::decode(d) {
            Ok(v) => v,
            Err(e) => return Err(e),
        };
        let ghost m = T::parse(ts).1;
        proof {
            assert(d.remaining() =~= ts.skip(m));
        }
        match skip_run(d, false) {
            Ok(()) => Ok(v),
            Err(e) => Err(e),
        }
    } else {
        match skip_value(d) {
            Ok(()) => (),
            Err(e) => return Err(e),
        }
        proof {
            lemma_skip_len_bounds(ts);
            let sn = skip_len(ts)->Some_0;
            assert(d.remaining() =~= ts.skip(sn));
        }
        nth_go::<T>(d, k - 1, n)
    }
}

/// A seeded decode that cares only about element `n` (0-indexed) of a
/// sequence; every other element is consumed and discarded.
pub struct NthElement<T> {
    n: usize,
    marker: PhantomData<T>,
}

impl<T> NthElement<T> {
    /// The wanted index.
    pub closed spec fn idx(self) -> int {
        self.n as int
    }

    /// A seed asking for element `n` of the sequence to come.
    pub fn new(n: usize) -> (s: Self)
        ensures
            s.idx() == n as int,
    {
        NthElement { n, marker: PhantomData }
    }
}

impl<T: Decode> Visitor for NthElement<T> {
    type Value = T;

    open spec fn bool_spec(self, b: bool) -> Result<T, ErrKind> {
        Err(ErrKind::Mismatch)
    }

    open spec fn int_spec(self, i: i128) -> Result<T, ErrKind> {
        Err(ErrKind::Mismatch)
    }

    open spec fn str_spec(self, s: String) -> Result<T, ErrKind> {
        Err(ErrKind::Mismatch)
    }

    open spec fn unit_spec(self) -> Result<T, ErrKind> {
        Err(ErrKind::Mismatch)
    }

    open spec fn seq_ok(self, ts: Seq<Token>, v: T, n: int) -> bool {
        nth_rec::<T>(ts, self.idx(), self.idx()) == (Ok::<T, ErrKind>(v), n)
    }

    open spec fn seq_err(self, ts: Seq<Token>, k: ErrKind) -> bool {
        nth_rec::<T>(ts, self.idx(), self.idx()).0 == Err::<T, ErrKind>(k)
    }

    open spec fn map_ok(self, ts: Seq<Token>, v: T, n: int) -> bool {
        false
    }

    open spec fn map_err(self, ts: Seq<Token>, k: ErrKind) -> bool {
        k == ErrKind::Mismatch
    }

    open spec fn expecting_spec(self) -> Seq<char> {
        "a sequence in which we care about element "@ + crate::token::dec_digits(self.idx())
    }

    fn expecting(&self) -> (r: String) {
        let mut s: String = "a sequence in which we care about element ".to_owned();
        crate::token::render_dec(self.n, &mut s);
        s
    }

    fn visit_bool(self, b: bool) -> (r: Result<T, DecodeError>) {
        Err(DecodeError::ShapeMismatch { expected: self.expecting(), found: Shape::Bool })
    }

    fn visit_int(self, i: i128) -> (r: Result<T, DecodeError>) {
        Err(DecodeError::ShapeMismatch { expected: self.expecting(), found: Shape::Integer })
    }

    fn visit_str(self, s: String) -> (r: Result<T, DecodeError>) {
        Err(DecodeError::ShapeMismatch { expected: self.expecting(), found: Shape::Text })
    }

    fn visit_unit(self) -> (r: Result<T, DecodeError>) {
        Err(DecodeError::ShapeMismatch { expected: self.expecting(), found: Shape::Unit })
    }

    fn visit_seq(self, d: &mut Decoder) -> (r: Result<T, DecodeError>) {
        let n = self.n;
        nth_go::<T>(d, n, n)
    }

    fn visit_map(self, d: &mut Decoder) -> (r: Result<T, DecodeError>) {
        Err(DecodeError::ShapeMismatch { expected: self.expecting(), found: Shape::Mapping })
    }
}

impl<T: Decode> DecodeSeed for NthElement<T> {
    type Value = T;

    open spec fn seed_ok(self, ts: Seq<Token>, v: T, n: int) -> bool {
        any_ok(self, ts, v, n)
    }

    open spec fn seed_err(self, ts: Seq<Token>, k: ErrKind) -> bool {
        any_err(self, ts, k)
    }

    /// Requests a sequence shape and runs this seed's visitor over it.
    fn consume(self, d: &mut Decoder) -> (r: Result<T, DecodeError>) {
        decode_any(d, self)
    }
}

} // verus!
