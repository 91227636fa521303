//! Processing a sequence of values without buffering it.
//!
//! [`MaxVisitor`] folds the maximum of a sequence of unsigned integers while
//! it is being decoded, element by element; the whole sequence is never held
//! in memory. [`Outer`] shows a structural decode delegating one field to
//! that fold: its `max_value` field comes from the input key `values`, whose
//! value is the sequence to fold.

use vstd::prelude::*;

use crate::decoder::{advanced, parse_str, parse_u64, Decoder};
use crate::discard::{lemma_skip_len_bounds, skip_len, skip_value};
use crate::token::{agrees, str_eq, DecodeError, ErrKind, Shape, Token};
use crate::visitor::{any_err, any_ok, decode_any, Visitor};

verus! {

/// The running fold: `cur` is the maximum seen so far; the rest of the
/// sequence is folded in, element by element, up to the closing token.
pub open spec fn max_rec(ts: Seq<Token>, cur: u64) -> (Result<u64, ErrKind>, int)
    decreases ts.len(),
{
    if ts.len() == 0 {
        (Err(ErrKind::Mismatch), 0)
    } else if ts[0] is SeqEnd {
        (Ok(cur), 1)
    } else {
        let (r, m) = parse_u64(ts);
        match r {
            Err(k) => (Err(k), 0),
            Ok(v) => if 0 <= m <= ts.len() {
                let t = max_rec(ts.skip(m), if v > cur { v } else { cur });
                (t.0, m + t.1)
            } else {
                (Err(ErrKind::Mismatch), 0)
            },
        }
    }
}

/// The fold over a whole sequence body: the first element is required (an
/// empty sequence has no maximum and is a custom error), the rest fold in.
pub open spec fn max_body(ts: Seq<Token>) -> (Result<u64, ErrKind>, int) {
    if ts.len() == 0 {
        (Err(ErrKind::Mismatch), 0)
    } else if ts[0] is SeqEnd {
        (Err(ErrKind::Custom), 0)
    } else {
        let (r, m) = parse_u64(ts);
        match r {
            Err(k) => (Err(k), 0),
            Ok(v) => if 0 <= m <= ts.len() {
                let t = max_rec(ts.skip(m), v);
                (t.0, m + t.1)
            } else {
                (Err(ErrKind::Mismatch), 0)
            },
        }
    }
}

/// The whole delegated decode: a sequence shape whose maximum is taken.
pub open spec fn max_parse(ts: Seq<Token>) -> (Result<u64, ErrKind>, int) {
    if ts.len() == 0 {
        (Err(ErrKind::Mismatch), 0)
    } else {
        match ts[0] {
            Token::SeqStart => {
                let t = max_body(ts.skip(1));
                (t.0, 1 + t.1)
            },
            _ => (Err(ErrKind::Mismatch), 0),
        }
    }
}

/// A visitor that folds the maximum of a nonempty sequence of `u64`s.
pub struct MaxVisitor;

impl Visitor for MaxVisitor {
    type Value = u64;

    open spec fn bool_spec(self, b: bool) -> Result<u64, ErrKind> {
        Err(ErrKind::Mismatch)
    }

    open spec fn int_spec(self, i: i128) -> Result<u64, ErrKind> {
        Err(ErrKind::Mismatch)
    }

    open spec fn str_spec(self, s: String) -> Result<u64, ErrKind> {
        Err(ErrKind::Mismatch)
    }

    open spec fn unit_spec(self) -> Result<u64, ErrKind> {
        Err(ErrKind::Mismatch)
    }

    open spec fn seq_ok(self, ts: Seq<Token>, v: u64, n: int) -> bool {
        max_body(ts) == (Ok::<u64, ErrKind>(v), n)
    }

    open spec fn seq_err(self, ts: Seq<Token>, k: ErrKind) -> bool {
        max_body(ts).0 == Err::<u64, ErrKind>(k)
    }

    open spec fn map_ok(self, ts: Seq<Token>, v: u64, n: int) -> bool {
        false
    }

    open spec fn map_err(self, ts: Seq<Token>, k: ErrKind) -> bool {
        k == ErrKind::Mismatch
    }

    open spec fn expecting_spec(self) -> Seq<char> {
        "a nonempty sequence of numbers"@
    }

    fn expecting(&self) -> (r: String) {
        "a nonempty sequence of numbers".to_owned()
    }

    fn visit_bool(self, b: bool) -> (r: Result<u64, DecodeError>) {
        Err(DecodeError::ShapeMismatch { expected: self.expecting(), found: Shape::Bool })
    }

    fn visit_int(self, i: i128) -> (r: Result<u64, DecodeError>) {
        Err(DecodeError::ShapeMismatch { expected: self.expecting(), found: Shape::Integer })
    }

    fn visit_str(self, s: String) -> (r: Result<u64, DecodeError>) {
        Err(DecodeError::ShapeMismatch { expected: self.expecting(), found: Shape::Text })
    }

    fn visit_unit(self) -> (r: Result<u64, DecodeError>) {
        Err(DecodeError::ShapeMismatch { expected: self.expecting(), found: Shape::Unit })
    }

    fn visit_seq(self, d: &mut Decoder) -> (r: Result<u64, DecodeError>) {
        let ghost ts0 = d.remaining();
        let s0 = d.peek_shape();
        if matches!(s0, Shape::SeqClose) {
            return Err(DecodeError::Custom {
                message: "no values in the sequence when looking for a maximum".to_owned(),
            });
        }
        let first = match d.decode_u64() {
            Ok(v) => v,
            Err(e) => return Err(e),
        };
        proof {
            assert(d.remaining() =~= ts0.skip(1));
        }
        let mut best: u64 = first;
        let ghost t0 = d.toks();
        let ghost p0 = d.pos_spec();
        loop
            invariant
                d.wf(),
                d.toks() == t0,
                t0 == old(d).toks(),
                p0 <= d.pos_spec(),
                0 <= p0,
                old(d).pos_spec() <= p0,
                ts0 == old(d).remaining(),
                max_body(ts0).0 == max_rec(d.remaining(), best).0,
                d.remaining() == t0.skip(d.pos_spec()),
                max_rec(d.remaining(), best).0 is Ok ==> max_body(ts0).1 == (d.pos_spec()
                    - old(d).pos_spec()) + max_rec(d.remaining(), best).1,
            decreases d.toks().len() - d.pos_spec(),
        {
            let ghost cur = d.remaining();
            let s = d.peek_shape();
            if matches!(s, Shape::SeqClose) {
                d.advance();
                return Ok(best);
            }
            let v = match d.decode_u64() {
                Ok(v) => v,
                Err(e) => return Err(e),
            };
            proof {
                assert(d.remaining() =~= cur.skip(1));
            }
            if v > best {
                best = v;
            }
        }
    }

    fn visit_map(self, d: &mut Decoder) -> (r: Result<u64, DecodeError>) {
        Err(DecodeError::ShapeMismatch { expected: self.expecting(), found: Shape::Mapping })
    }
}

/// Decodes the maximum of a sequence of values while it streams past; the
/// sequence itself is never buffered.
pub fn deserialize_max(d: &mut Decoder) -> (r: Result<u64, DecodeError>)
    requires
        old(d).wf(),
    ensures
        advanced(*old(d), *final(d)),
        agrees(r, max_parse(old(d).remaining()).0),
        r is Ok ==> final(d).pos_spec() == old(d).pos_spec() + max_parse(old(d).remaining()).1,
{
    let ghost ts = d.remaining();
    let r = decode_any(d, MaxVisitor);
    proof {
        if r is Ok {
            assert(any_ok(MaxVisitor, ts, r->Ok_0, d.pos_spec() - old(d).pos_spec()));
        }
        if r is Err {
            assert(any_err(MaxVisitor, ts, r->Err_0.kind()));
        }
    }
    r
}

/// An aggregate whose `max_value` field is decoded, under the input key
/// `values`, by folding the maximum of the sequence found there.
#[derive(Debug, Clone, PartialEq, Eq)]
pub struct Outer {
    pub id: String,
    pub max_value: u64,
}

/// The map-body parser for `Outer`: the key `id` is a string, the key
/// `values` folds its sequence through [`max_body`], and unknown keys are
/// ignored through the discard path.
pub open spec fn outer_entries(ts: Seq<Token>, io: Option<String>, mo: Option<u64>) -> (Result<
    (Option<String>, Option<u64>),
    ErrKind,
>, int)
    decreases ts.len(),
{
    if ts.len() == 0 {
        (Err(ErrKind::Mismatch), 0)
    } else {
        match ts[0] {
            Token::MapEnd => (Ok((io, mo)), 1),
            Token::Str(k) => if k@ == "id"@ {
                if io is Some {
                    (Err(ErrKind::Duplicate(k@)), 0)
                } else {
                    let (r, m) = parse_str(ts.skip(1));
                    match r {
                        Ok(v) => if 0 <= m <= ts.len() - 1 {
                            let t = outer_entries(ts.skip(1 + m), Some(v), mo);
                            (t.0, 1 + m + t.1)
                        } else {
                            (Err(ErrKind::Mismatch), 0)
                        },
                        Err(k2) => (Err(k2), 0),
                    }
                }
            } else if k@ == "values"@ {
                if mo is Some {
                    (Err(ErrKind::Duplicate(k@)), 0)
                } else {
                    let (r, m) = max_parse(ts.skip(1));
                    match r {
                        Ok(v) => if 0 <= m <= ts.len() - 1 {
                            let t = outer_entries(ts.skip(1 + m), io, Some(v));
                            (t.0, 1 + m + t.1)
                        } else {
                            (Err(ErrKind::Mismatch), 0)
                        },
                        Err(k2) => (Err(k2), 0),
                    }
                }
            } else {
                match skip_len(ts.skip(1)) {
                    Some(m) => if 1 <= m <= ts.len() - 1 {
                        let t = outer_entries(ts.skip(1 + m), io, mo);
                        (t.0, 1 + m + t.1)
                    } else {
                        (Err(ErrKind::Mismatch), 0)
                    },
                    None => (Err(ErrKind::Mismatch), 0),
                }
            },
            _ => (Err(ErrKind::Mismatch), 0),
        }
    }
}

/// The whole decode of an `Outer`: a map shape with both fields required.
pub open spec fn outer_parse(ts: Seq<Token>) -> (Result<(Option<String>, Option<u64>), ErrKind>, int) {
    if ts.len() == 0 {
        (Err(ErrKind::Mismatch), 0)
    } else {
        match ts[0] {
            Token::MapStart => {
                let t = outer_entries(ts.skip(1), None, None);
                (t.0, 1 + t.1)
            },
            _ => (Err(ErrKind::Mismatch), 0),
        }
    }
}

impl Outer {
    /// Decodes an `Outer`, both fields required, unknown keys ignored.
    pub fn decode(d: &mut Decoder) -> (r: Result<Outer, DecodeError>)
        requires
            old(d).wf(),
        ensures
            advanced(*old(d), *final(d)),
            match outer_parse(old(d).remaining()).0 {
                Ok(acc) => match (acc.0, acc.1) {
                    (Some(i), Some(m)) => r matches Ok(o) && o.id == i && o.max_value == m,
                    (None, _) => r matches Err(e) && e.kind() == ErrKind::Missing("id"@),
                    _ => r matches Err(e) && e.kind() == ErrKind::Missing("values"@),
                },
                Err(k) => r matches Err(e) && e.kind() == k,
            },
            r is Ok ==> final(d).pos_spec() == old(d).pos_spec() + outer_parse(
                old(d).remaining(),
            ).1,
    {
        let ghost orig0 = d.remaining();
        let s = d.peek_shape();
        if !matches!(s, Shape::Mapping) {
            return Err(DecodeError::ShapeMismatch {
                expected: "struct Outer".to_owned(),
                found: s,
            });
        }
        d.advance();
        let ghost orig = d.remaining();
        proof {
            assert(orig =~= orig0.skip(1));
        }
        let ghost t0 = d.toks();
        let ghost p0 = d.pos_spec();
        let mut id_val: Option<String> = None;
        let mut max_val: Option<u64> = None;
        loop
            invariant
                d.wf(),
                d.toks() == t0,
                t0 == old(d).toks(),
                old(d).wf(),
                p0 <= d.pos_spec(),
                0 <= p0,
                orig == t0.skip(p0),
                orig0 == old(d).remaining(),
                orig0.len() > 0,
                orig0[0] is MapStart,
                p0 == old(d).pos_spec() + 1,
                orig == orig0.skip(1),
                outer_entries(orig, None, None).0 == outer_entries(
                    d.remaining(),
                    id_val,
                    max_val,
                ).0,
                outer_entries(d.remaining(), id_val, max_val).0 is Ok ==> outer_entries(
                    orig,
                    None,
                    None,
                ).1 == (d.pos_spec() - p0) + outer_entries(d.remaining(), id_val, max_val).1,
            decreases d.toks().len() - d.pos_spec(),
        {
            let ghost cur = d.remaining();
            let s = d.peek_shape();
            match s {
                Shape::MapClose => {
                    d.advance();
                    let id = match id_val {
                        Some(v) => v,
                        None => {
                            return Err(DecodeError::MissingField { field: "id".to_owned() });
                        },
                    };
                    let max_value = match max_val {
                        Some(v) => v,
                        None => {
                            return Err(
                                DecodeError::MissingField { field: "values".to_owned() },
                            );
                        },
                    };
                    return Ok(Outer { id, max_value });
                },
                Shape::Text => {
                    let key = match d.decode_identifier() {
                        Ok(k) => k,
                        Err(e) => return Err(e),
                    };
                    proof {
                        assert(d.remaining() =~= cur.skip(1));
                    }
                    if str_eq(key.as_str(), "id") {
                        if id_val.is_some() {
                            return Err(DecodeError::DuplicateField { field: key });
                        }
                        let v = match d.decode_str() {
                            Ok(v) => v,
                            Err(e) => return Err(e),
                        };
                        proof {
                            assert(d.remaining() =~= cur.skip(2));
                        }
                        id_val = Some(v);
                    } else if str_eq(key.as_str(), "values") {
                        if max_val.is_some() {
                            return Err(DecodeError::DuplicateField { field: key });
                        }
                        let ghost before = d.remaining();
                        let v = match deserialize_max(d) {
                            Ok(v) => v,
                            Err(e) => return Err(e),
                        };
                        proof {
                            let m = max_parse(before).1;
                            assert(d.remaining() =~= cur.skip(1).skip(m));
                            assert(cur.skip(1).skip(m) =~= cur.skip(1 + m));
                        }
                        max_val = Some(v);
                    } else {
                        match skip_value(d) {
                            Ok(()) => (),
                            Err(e) => return Err(e),
                        }
                        proof {
                            lemma_skip_len_bounds(cur.skip(1));
                            if skip_len(cur.skip(1)) is Some {
                                let m = skip_len(cur.skip(1))->Some_0;
                                assert(d.remaining() =~= cur.skip(1).skip(m));
                                assert(cur.skip(1).skip(m) =~= cur.skip(1 + m));
                            }
                        }
                    }
                },
                _ => {
                    return Err(DecodeError::ShapeMismatch {
                        expected: "struct Outer".to_owned(),
                        found: s,
                    });
                },
            }
        }
    }
}

} // verus!
