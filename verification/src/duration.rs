//! A hand-written structural decode for a two-field struct.
//!
//! `Duration` decodes from either a map shape (`{"secs": s, "nanos": n}`,
//! entries in any order, duplicates and unknown keys rejected, both fields
//! required) or a sequence shape (`[s, n]`, a missing element reported as an
//! invalid length at its index). Field names travel as identifiers and are
//! themselves decoded; the whole behaviour is pinned by the parsers
//! [`dur_entries`], [`dur_seq`] and [`dur_parse`], and the round-trip law
//! [`lemma_duration_round_trip`] proves that decoding a canonical encoding
//! of any value yields that value back.

use vstd::prelude::*;

use crate::decode::Decode;
use crate::decoder::{parse_str, parse_u32, parse_u64, Decoder};
use crate::token::{str_eq, DecodeError, ErrKind, Shape, Token};
use crate::visitor::{any_err, any_ok, decode_any, Visitor};

verus! {

/// A span of time: whole seconds and a sub-second remainder in nanoseconds.
#[derive(Debug, Clone, Copy, PartialEq, Eq, Structural)]
pub struct Duration {
    pub secs: u64,
    pub nanos: u32,
}

impl Duration {
    /// Builds a duration from its two fields.
    pub fn new(secs: u64, nanos: u32) -> (d: Duration)
        ensures
            d == (Duration { secs, nanos }),
    {
        Duration { secs, nanos }
    }
}

/// The map-shape parser for `Duration`, entry by entry: `so`/`no` hold the
/// fields seen so far. A repeated field is a duplicate, a name that is
/// neither `secs` nor `nanos` is unknown, and at the closing token both
/// fields must have been seen.
pub open spec fn dur_entries(ts: Seq<Token>, so: Option<u64>, no: Option<u32>) -> (Result<
    Duration,
    ErrKind,
>, int)
    decreases ts.len(),
{
    if ts.len() == 0 {
        (Err(ErrKind::Mismatch), 0)
    } else {
        match ts[0] {
            Token::MapEnd => match (so, no) {
                (Some(s), Some(n)) => (Ok(Duration { secs: s, nanos: n }), 1),
                (None, _) => (Err(ErrKind::Missing("secs"@)), 0),
                _ => (Err(ErrKind::Missing("nanos"@)), 0),
            },
            Token::Str(k) => if k@ == "secs"@ {
                if so is Some {
                    (Err(ErrKind::Duplicate(k@)), 0)
                } else {
                    let (r, m) = parse_u64(ts.skip(1));
                    match r {
                        Ok(v) => if 0 <= m <= ts.len() - 1 {
                            let t = dur_entries(ts.skip(1 + m), Some(v), no);
                            (t.0, 1 + m + t.1)
                        } else {
                            (Err(ErrKind::Mismatch), 0)
                        },
                        Err(k2) => (Err(k2), 0),
                    }
                }
            } else if k@ == "nanos"@ {
                if no is Some {
                    (Err(ErrKind::Duplicate(k@)), 0)
                } else {
                    let (r, m) = parse_u32(ts.skip(1));
                    match r {
                        Ok(v) => if 0 <= m <= ts.len() - 1 {
                            let t = dur_entries(ts.skip(1 + m), so, Some(v));
                            (t.0, 1 + m + t.1)
                        } else {
                            (Err(ErrKind::Mismatch), 0)
                        },
                        Err(k2) => (Err(k2), 0),
                    }
                }
            } else {
                (Err(ErrKind::Unknown(k@)), 0)
            },
            _ => (Err(ErrKind::Mismatch), 0),
        }
    }
}

/// The sequence-shape parser for `Duration`: the two fields in order, then
/// the closing token. A missing element fails with an invalid length citing
/// the index of the first element that is not there.
pub open spec fn dur_seq(ts: Seq<Token>) -> (Result<Duration, ErrKind>, int) {
    if ts.len() == 0 {
        (Err(ErrKind::Mismatch), 0)
    } else if ts[0] is SeqEnd {
        (Err(ErrKind::BadLength(0)), 0)
    } else {
        let (r0, m0) = parse_u64(ts);
        match r0 {
            Err(k) => (Err(k), 0),
            Ok(s) => {
                let ts1 = ts.skip(m0);
                if ts1.len() == 0 {
                    (Err(ErrKind::Mismatch), 0)
                } else if ts1[0] is SeqEnd {
                    (Err(ErrKind::BadLength(1)), 0)
                } else {
                    let (r1, m1) = parse_u32(ts1);
                    match r1 {
                        Err(k) => (Err(k), 0),
                        Ok(n) => {
                            let ts2 = ts1.skip(m1);
                            if ts2.len() > 0 && ts2[0] is SeqEnd {
                                (Ok(Duration { secs: s, nanos: n }), m0 + m1 + 1)
                            } else {
                                (Err(ErrKind::Mismatch), 0)
                            }
                        },
                    }
                }
            },
        }
    }
}

/// The whole decode of a `Duration`: a map shape or a sequence shape.
pub open spec fn dur_parse(ts: Seq<Token>) -> (Result<Duration, ErrKind>, int) {
    if ts.len() == 0 {
        (Err(ErrKind::Mismatch), 0)
    } else {
        match ts[0] {
            Token::MapStart => {
                let t = dur_entries(ts.skip(1), None, None);
                (t.0, 1 + t.1)
            },
            Token::SeqStart => {
                let t = dur_seq(ts.skip(1));
                (t.0, 1 + t.1)
            },
            _ => (Err(ErrKind::Mismatch), 0),
        }
    }
}

/// The visitor that builds a `Duration` from a map or a sequence shape.
pub struct DurationVisitor;

impl Visitor for DurationVisitor {
    type Value = Duration;

    open spec fn bool_spec(self, b: bool) -> Result<Duration, ErrKind> {
        Err(ErrKind::Mismatch)
    }

    open spec fn int_spec(self, i: i128) -> Result<Duration, ErrKind> {
        Err(ErrKind::Mismatch)
    }

    open spec fn str_spec(self, s: String) -> Result<Duration, ErrKind> {
        Err(ErrKind::Mismatch)
    }

    open spec fn unit_spec(self) -> Result<Duration, ErrKind> {
        Err(ErrKind::Mismatch)
    }

    open spec fn seq_ok(self, ts: Seq<Token>, v: Duration, n: int) -> bool {
        dur_seq(ts) == (Ok::<Duration, ErrKind>(v), n)
    }

    open spec fn seq_err(self, ts: Seq<Token>, k: ErrKind) -> bool {
        dur_seq(ts).0 == Err::<Duration, ErrKind>(k)
    }

    open spec fn map_ok(self, ts: Seq<Token>, v: Duration, n: int) -> bool {
        dur_entries(ts, None, None) == (Ok::<Duration, ErrKind>(v), n)
    }

    open spec fn map_err(self, ts: Seq<Token>, k: ErrKind) -> bool {
        dur_entries(ts, None, None).0 == Err::<Duration, ErrKind>(k)
    }

    open spec fn expecting_spec(self) -> Seq<char> {
        "struct Duration"@
    }

    fn expecting(&self) -> (r: String) {
        "struct Duration".to_owned()
    }

    fn visit_bool(self, b: bool) -> (r: Result<Duration, DecodeError>) {
        Err(DecodeError::ShapeMismatch { expected: self.expecting(), found: Shape::Bool })
    }

    fn visit_int(self, i: i128) -> (r: Result<Duration, DecodeError>) {
        Err(DecodeError::ShapeMismatch { expected: self.expecting(), found: Shape::Integer })
    }

    fn visit_str(self, s: String) -> (r: Result<Duration, DecodeError>) {
        Err(DecodeError::ShapeMismatch { expected: self.expecting(), found: Shape::Text })
    }

    fn visit_unit(self) -> (r: Result<Duration, DecodeError>) {
        Err(DecodeError::ShapeMismatch { expected: self.expecting(), found: Shape::Unit })
    }

    fn visit_seq(self, d: &mut Decoder) -> (r: Result<Duration, DecodeError>) {
        let ghost ts0 = d.remaining();
        let s0 = d.peek_shape();
        if matches!(s0, Shape::SeqClose) {
            return Err(DecodeError::InvalidLength { index: 0 });
        }
        let secs = match d.decode_u64() {
            Ok(v) => v,
            Err(e) => return Err(e),
        };
        proof {
            assert(d.remaining() =~= ts0.skip(1));
        }
        let s1 = d.peek_shape();
        if matches!(s1, Shape::SeqClose) {
            return Err(DecodeError::InvalidLength { index: 1 });
        }
        let nanos = match d.decode_u32() {
            Ok(v) => v,
            Err(e) => return Err(e),
        };
        proof {
            assert(d.remaining() =~= ts0.skip(1).skip(1));
        }
        let s2 = d.peek_shape();
        if matches!(s2, Shape::SeqClose) {
            d.advance();
            Ok(Duration { secs, nanos })
        } else {
            Err(DecodeError::ShapeMismatch {
                expected: "the end of the sequence".to_owned(),
                found: s2,
            })
        }
    }

    fn visit_map(self, d: &mut Decoder) -> (r: Result<Duration, DecodeError>) {
        let ghost orig = d.remaining();
        let ghost t0 = d.toks();
        let ghost p0 = d.pos_spec();
        let mut secs_val: Option<u64> = None;
        let mut nanos_val: Option<u32> = None;
        loop
            invariant
                d.wf(),
                d.toks() == t0,
                p0 <= d.pos_spec(),
                orig == t0.skip(p0),
                0 <= p0,
                t0 == old(d).toks(),
                p0 == old(d).pos_spec(),
                orig == old(d).remaining(),
                dur_entries(orig, None, None).0 == dur_entries(
                    d.remaining(),
                    secs_val,
                    nanos_val,
                ).0,
                dur_entries(d.remaining(), secs_val, nanos_val).0 is Ok ==> dur_entries(
                    orig,
                    None,
                    None,
                ).1 == (d.pos_spec() - p0) + dur_entries(d.remaining(), secs_val, nanos_val).1,
            decreases d.toks().len() - d.pos_spec(),
        {
            let ghost cur = d.remaining();
            let s = d.peek_shape();
            match s {
                Shape::MapClose => {
                    d.advance();
                    match secs_val {
                        None => {
                            return Err(DecodeError::MissingField { field: "secs".to_owned() });
                        },
                        Some(sv) => match nanos_val {
                            None => {
                                return Err(
                                    DecodeError::MissingField { field: "nanos".to_owned() },
                                );
                            },
                            Some(nv) => {
                                return Ok(Duration { secs: sv, nanos: nv });
                            },
                        },
                    }
                },
                Shape::Text => {
                    let key = match d.decode_identifier() {
                        Ok(k) => k,
                        Err(e) => return Err(e),
                    };
                    proof {
                        assert(d.remaining() =~= cur.skip(1));
                    }
                    if str_eq(key.as_str(), "secs") {
                        if secs_val.is_some() {
                            return Err(DecodeError::DuplicateField { field: key });
                        }
                        let v = match d.decode_u64() {
                            Ok(v) => v,
                            Err(e) => return Err(e),
                        };
                        proof {
                            assert(d.remaining() =~= cur.skip(2));
                        }
                        secs_val = Some(v);
                    } else if str_eq(key.as_str(), "nanos") {
                        if nanos_val.is_some() {
                            return Err(DecodeError::DuplicateField { field: key });
                        }
                        let v = match d.decode_u32() {
                            Ok(v) => v,
                            Err(e) => return Err(e),
                        };
                        proof {
                            assert(d.remaining() =~= cur.skip(2));
                        }
                        nanos_val = Some(v);
                    } else {
                        return Err(DecodeError::UnknownField { field: key });
                    }
                },
                _ => {
                    return Err(DecodeError::ShapeMismatch {
                        expected: "struct Duration".to_owned(),
                        found: s,
                    });
                },
            }
        }
    }
}

impl Decode for Duration {
    open spec fn parse(ts: Seq<Token>) -> (Result<Duration, ErrKind>, int) {
        dur_parse(ts)
    }

    fn decode(d: &mut Decoder) -> (r: Result<Duration, DecodeError>) {
        let ghost ts = d.remaining();
        let r = decode_any(d, DurationVisitor);
        proof {
            if r is Ok {
                assert(any_ok(DurationVisitor, ts, r->Ok_0, d.pos_spec() - old(d).pos_spec()));
            }
            if r is Err {
                assert(any_err(DurationVisitor, ts, r->Err_0.kind()));
            }
        }
        r
    }
}

impl Duration {
    /// The canonical map-shape encoding of this value: its two fields, in
    /// declaration order.
    pub open spec fn map_encoding(self, ts: Seq<Token>) -> bool {
        &&& ts.len() == 6
        &&& ts[0] is MapStart
        &&& (ts[1] matches Token::Str(k) && k@ == "secs"@)
        &&& ts[2] == Token::Int(self.secs as i128)
        &&& (ts[3] matches Token::Str(k) && k@ == "nanos"@)
        &&& ts[4] == Token::Int(self.nanos as i128)
        &&& ts[5] is MapEnd
    }

    /// Appends the canonical map-shape encoding of this value.
    pub fn encode(&self, out: &mut Vec<Token>)
        ensures
            final(out)@.len() == old(out)@.len() + 6,
            final(out)@.subrange(0, old(out)@.len() as int) == old(out)@,
            self.map_encoding(final(out)@.skip(old(out)@.len() as int)),
    {
        let ghost n0 = out@.len() as int;
        out.push(Token::MapStart);
        out.push(Token::Str("secs".to_owned()));
        out.push(Token::Int(self.secs as i128));
        out.push(Token::Str("nanos".to_owned()));
        out.push(Token::Int(self.nanos as i128));
        out.push(Token::MapEnd);
        proof {
            assert(out@.subrange(0, n0) =~= old(out)@);
            assert(out@.skip(n0).len() == 6);
            assert(out@.skip(n0)[0] == out@[n0]);
            assert(out@.skip(n0)[1] == out@[n0 + 1]);
            assert(out@.skip(n0)[2] == out@[n0 + 2]);
            assert(out@.skip(n0)[3] == out@[n0 + 3]);
            assert(out@.skip(n0)[4] == out@[n0 + 4]);
            assert(out@.skip(n0)[5] == out@[n0 + 5]);
        }
    }
}

/// Round trip: decoding the canonical encoding of any `Duration`, whatever
/// follows it, reproduces that value and consumes exactly the encoding.
pub proof fn lemma_duration_round_trip(v: Duration, ts: Seq<Token>, rest: Seq<Token>)
    requires
        v.map_encoding(ts),
    ensures
        dur_parse(ts + rest) == (Ok::<Duration, ErrKind>(v), 6int),
{
    reveal_strlit("secs");
    reveal_strlit("nanos");
    let all = ts + rest;
    assert(all[0] == ts[0]);
    assert(all[1] == ts[1]);
    assert(all[2] == ts[2]);
    assert(all[3] == ts[3]);
    assert(all[4] == ts[4]);
    assert(all[5] == ts[5]);
    let c1 = all.skip(1);
    let c3 = all.skip(3);
    let c5 = all.skip(5);
    assert(c1[0] == all[1] && c1[1] == all[2]);
    assert(c3[0] == all[3] && c3[1] == all[4]);
    assert(c5[0] == all[5]);
    assert(c1.skip(1) =~= all.skip(2));
    assert(c3.skip(1) =~= all.skip(4));
    assert(c1.skip(2) =~= c3);
    assert(c3.skip(2) =~= c5);
    assert(all.skip(2)[0] == all[2]);
    assert(all.skip(4)[0] == all[4]);
    assert(parse_u64(all.skip(2)) == (Ok::<u64, ErrKind>(v.secs), 1int));
    assert(parse_u32(all.skip(4)) == (Ok::<u32, ErrKind>(v.nanos), 1int));
    assert("secs"@.len() == 4);
    assert("nanos"@.len() == 5);
    assert("secs"@ != "nanos"@);
    assert(dur_entries(c5, Some(v.secs), Some(v.nanos)) == (Ok::<Duration, ErrKind>(v), 1int));
    assert(dur_entries(c3, Some(v.secs), None) == (Ok::<Duration, ErrKind>(v), 3int));
    assert(dur_entries(c1, None, None) == (Ok::<Duration, ErrKind>(v), 5int));
    assert(dur_parse(all) == (Ok::<Duration, ErrKind>(v), 6int));
}

/// A sequence shape with fewer elements than the two required fields fails
/// with an invalid length citing the index of the first missing element,
/// whatever the elements that are present hold.
pub proof fn lemma_duration_seq_too_short(v0: u64, rest: Seq<Token>)
    ensures
        dur_parse(seq![Token::SeqStart, Token::SeqEnd] + rest).0 == Err::<Duration, ErrKind>(
            ErrKind::BadLength(0),
        ),
        dur_parse(seq![Token::SeqStart, Token::Int(v0 as i128), Token::SeqEnd] + rest).0
            == Err::<Duration, ErrKind>(ErrKind::BadLength(1)),
{
    let a0 = seq![Token::SeqStart, Token::SeqEnd] + rest;
    assert(a0[0] == Token::SeqStart);
    assert(a0.skip(1)[0] == a0[1]);
    let a1 = seq![Token::SeqStart, Token::Int(v0 as i128), Token::SeqEnd] + rest;
    assert(a1[0] == Token::SeqStart);
    let b1 = a1.skip(1);
    assert(b1[0] == a1[1]);
    assert(parse_u64(b1) == (Ok::<u64, ErrKind>(v0), 1int));
    assert(b1.skip(1)[0] == a1[2]);
}

} // verus!
